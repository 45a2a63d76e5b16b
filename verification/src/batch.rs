//! Validation and planning of rename batches.
//!
//! A batch is an ordered list of `(from, to)` pairs. Before any file is
//! touched, the whole batch is checked for duplicate destinations, and then
//! pair by pair for a missing source, a destination that leaves the source's
//! directory tree, and suspicious destination components. The caller samples
//! which sources exist and hands the flags in; only when validation succeeds
//! may it perform the renames, in batch order.

use vstd::prelude::*;
use vstd::string::StringExecFns;
use crate::paths::check_escapes_source_tree;
use crate::paths::check_invalid_components;
use crate::paths::escapes_source_tree;
use crate::paths::has_invalid_components;
use crate::paths::str_eq;

verus! {

/// One planned rename: absolute source and destination path strings.
pub struct RenamePair {
    pub from: String,
    pub to: String,
}

/// The mathematical image of a rename pair: its two path strings as
/// character sequences.
pub struct PairModel {
    pub from: Seq<char>,
    pub to: Seq<char>,
}

impl View for RenamePair {
    type V = PairModel;

    open spec fn view(&self) -> PairModel {
        PairModel { from: self.from@, to: self.to@ }
    }
}

impl Clone for RenamePair {
    fn clone(&self) -> (r: Self)
        ensures
            r@ == self@,
    {
        RenamePair { from: self.from.clone(), to: self.to.clone() }
    }
}

/// The images of all pairs of a batch, in batch order.
pub open spec fn batch_views(ps: Seq<RenamePair>) -> Seq<PairModel> {
    ps.map_values(|p: RenamePair| p@)
}

/// The same pair with source and destination exchanged.
pub open spec fn swapped(p: PairModel) -> PairModel {
    PairModel { from: p.to, to: p.from }
}

/// The pairwise-reversed batch: every pair exchanged, batch order kept.
pub open spec fn reversed_views(vs: Seq<PairModel>) -> Seq<PairModel> {
    vs.map_values(|p: PairModel| swapped(p))
}

/// Why a batch was refused.
pub enum RenameError {
    /// Two pairs name the same destination.
    Conflict,
    /// The carried source path does not exist.
    SourceMissing(String),
    /// A destination's parent directory leaves the source's directory tree.
    Traversal,
    /// A destination holds a parent-reference token or a backslash.
    InvalidComponents,
}

/// Outcome of applying one batch.
pub struct ApplyResult {
    pub success: bool,
    pub error: Option<RenameError>,
}

/// Outcome of undoing one batch.
pub struct UndoResult {
    pub success: bool,
    pub restored_count: usize,
    pub error: Option<RenameError>,
}

/// Two or more pairs of the batch name the same destination.
pub open spec fn has_target_conflict(vs: Seq<PairModel>) -> bool {
    exists|i: int, j: int| 0 <= i < j < vs.len() && #[trigger] vs[i].to == #[trigger] vs[j].to
}

/// What is wrong with one pair, given whether its source exists. The checks
/// run in this order: a missing source, then an escaping destination, then
/// bad destination components.
pub enum PairProblem {
    Missing,
    Escapes,
    BadComponents,
}

/// The first failing check of one pair, if any.
pub open spec fn pair_problem(p: PairModel, from_exists: bool) -> Option<PairProblem> {
    if !from_exists {
        Some(PairProblem::Missing)
    } else if escapes_source_tree(p.from, p.to) {
        Some(PairProblem::Escapes)
    } else if has_invalid_components(p.to) {
        Some(PairProblem::BadComponents)
    } else {
        None
    }
}

/// The position of the first pair with a problem, looking from `i` onward.
pub open spec fn first_problem_from(vs: Seq<PairModel>, ex: Seq<bool>, i: int) -> Option<int>
    decreases vs.len() - i,
    when 0 <= i <= vs.len()
{
    if i >= vs.len() {
        None
    } else if pair_problem(vs[i], ex[i]) is Some {
        Some(i)
    } else {
        first_problem_from(vs, ex, i + 1)
    }
}

/// The position of the first pair with a problem, if any.
pub open spec fn first_problem(vs: Seq<PairModel>, ex: Seq<bool>) -> Option<int> {
    first_problem_from(vs, ex, 0)
}

/// `e` names the problem of the pair `p` the way `validate_batch` reports
/// it: the right error variant, and for a missing source the offending path.
pub open spec fn reports_problem(e: Option<RenameError>, p: PairModel, from_exists: bool) -> bool {
    match pair_problem(p, from_exists) {
        Some(PairProblem::Missing) => e matches Some(RenameError::SourceMissing(s)) && s@ == p.from,
        Some(PairProblem::Escapes) => e == Some(RenameError::Traversal),
        Some(PairProblem::BadComponents) => e == Some(RenameError::InvalidComponents),
        None => e is None,
    }
}

/// The full contract of batch validation: a duplicate destination fails the
/// whole batch with a conflict error before anything else is looked at;
/// otherwise the first pair with a problem decides failure and the reported
/// error; a batch without problems succeeds with no error.
pub open spec fn validated(vs: Seq<PairModel>, ex: Seq<bool>, r: ApplyResult) -> bool {
    if has_target_conflict(vs) {
        !r.success && r.error == Some(RenameError::Conflict)
    } else {
        match first_problem(vs, ex) {
            None => r.success && r.error is None,
            Some(k) => !r.success && reports_problem(r.error, vs[k], ex[k]),
        }
    }
}

/// When no pair before `k` has a problem and pair `k` has one, `k` is the
/// first problem position.
pub proof fn lemma_first_problem_at(vs: Seq<PairModel>, ex: Seq<bool>, i: int, k: int)
    requires
        vs.len() == ex.len(),
        0 <= i <= k < vs.len(),
        forall|j: int| i <= j < k ==> #[trigger] pair_problem(vs[j], ex[j]) is None,
        pair_problem(vs[k], ex[k]) is Some,
    ensures
        first_problem_from(vs, ex, i) == Some(k),
    decreases k - i,
{
    if i < k {
        lemma_first_problem_at(vs, ex, i + 1, k);
    }
}

/// When no pair from `i` onward has a problem, there is no first problem.
pub proof fn lemma_first_problem_none(vs: Seq<PairModel>, ex: Seq<bool>, i: int)
    requires
        vs.len() == ex.len(),
        0 <= i <= vs.len(),
        forall|j: int| i <= j < vs.len() ==> #[trigger] pair_problem(vs[j], ex[j]) is None,
    ensures
        first_problem_from(vs, ex, i) is None,
    decreases vs.len() - i,
{
    if i < vs.len() {
        lemma_first_problem_none(vs, ex, i + 1);
    }
}

/// When some pair has a problem, there is a first pair with a problem.
pub proof fn lemma_problem_somewhere(vs: Seq<PairModel>, ex: Seq<bool>, i: int, k: int)
    requires
        vs.len() == ex.len(),
        0 <= i <= k < vs.len(),
        pair_problem(vs[k], ex[k]) is Some,
    ensures
        first_problem_from(vs, ex, i) is Some,
    decreases k - i,
{
    if i < k && pair_problem(vs[i], ex[i]) is None {
        lemma_problem_somewhere(vs, ex, i + 1, k);
    }
}

/// When there is no first problem from `i` onward, no pair from `i` onward
/// has one.
pub proof fn lemma_no_problem_anywhere(vs: Seq<PairModel>, ex: Seq<bool>, i: int, k: int)
    requires
        vs.len() == ex.len(),
        0 <= i <= k < vs.len(),
        first_problem_from(vs, ex, i) is None,
    ensures
        pair_problem(vs[k], ex[k]) is None,
    decreases k - i,
{
    if i < k {
        lemma_no_problem_anywhere(vs, ex, i + 1, k);
    }
}

/// Law: a batch that validation accepted has pairwise-distinct
/// destinations, and every source was seen to exist.
pub proof fn lemma_accepted_batch(vs: Seq<PairModel>, ex: Seq<bool>, r: ApplyResult)
    requires
        vs.len() == ex.len(),
        validated(vs, ex, r),
        r.success,
    ensures
        !has_target_conflict(vs),
        forall|i: int| 0 <= i < ex.len() ==> ex[i],
{
    assert forall|i: int| 0 <= i < ex.len() implies ex[i] by {
        lemma_no_problem_anywhere(vs, ex, 0, i);
    }
}

/// Law: a batch in which two pairs name the same destination is refused
/// with a conflict error. Validation is free of mutation, so nothing on
/// disk changes for such a batch.
pub proof fn lemma_conflict_refused(vs: Seq<PairModel>, ex: Seq<bool>, r: ApplyResult)
    requires
        validated(vs, ex, r),
        has_target_conflict(vs),
    ensures
        !r.success,
        r.error == Some(RenameError::Conflict),
{
}

/// Law: a batch in which some source path does not exist is refused; and
/// when no pair before the missing one is objectionable, the error names
/// that first missing path.
pub proof fn lemma_missing_source_refused(vs: Seq<PairModel>, ex: Seq<bool>, r: ApplyResult, i: int)
    requires
        vs.len() == ex.len(),
        validated(vs, ex, r),
        0 <= i < ex.len(),
        !ex[i],
    ensures
        !r.success,
        (!has_target_conflict(vs) && (forall|j: int|
            0 <= j < i ==> #[trigger] pair_problem(vs[j], ex[j]) is None)) ==> (
        r.error matches Some(RenameError::SourceMissing(s)) && s@ == vs[i].from),
{
    if !has_target_conflict(vs) {
        lemma_problem_somewhere(vs, ex, 0, i);
        if forall|j: int| 0 <= j < i ==> #[trigger] pair_problem(vs[j], ex[j]) is None {
            lemma_first_problem_at(vs, ex, 0, i);
        }
    }
}

/// Law: a batch in which some destination holds a parent-reference token
/// or a backslash is refused, whatever the existence checks found.
pub proof fn lemma_invalid_destination_refused(
    vs: Seq<PairModel>,
    ex: Seq<bool>,
    r: ApplyResult,
    i: int,
)
    requires
        vs.len() == ex.len(),
        validated(vs, ex, r),
        0 <= i < vs.len(),
        has_invalid_components(vs[i].to),
    ensures
        !r.success,
{
    if !has_target_conflict(vs) {
        lemma_problem_somewhere(vs, ex, 0, i);
    }
}

/// Whether two pairs of the batch name the same destination.
pub fn detect_target_conflict(pairs: &Vec<RenamePair>) -> (r: bool)
    ensures
        r == has_target_conflict(batch_views(pairs@)),
{
    let ghost vs = batch_views(pairs@);
    let n = pairs.len();
    let mut i: usize = 0;
    while i < n
        invariant
            i <= n,
            n == vs.len(),
            vs == batch_views(pairs@),
            n == pairs@.len(),
            forall|a: int, b: int|
                0 <= a < b < n && a < i ==> #[trigger] vs[a].to != #[trigger] vs[b].to,
        decreases n - i,
    {
        let mut j: usize = i + 1;
        while j < n
            invariant
                i < j <= n,
                i < n,
                n == vs.len(),
                vs == batch_views(pairs@),
                n == pairs@.len(),
                forall|b: int| i < b < j ==> #[trigger] vs[b].to != vs[i as int].to,
            decreases n - j,
        {
            if str_eq(pairs[i].to.as_str(), pairs[j].to.as_str()) {
                assert(vs[i as int].to == vs[j as int].to);
                return true;
            }
            j = j + 1;
        }
        i = i + 1;
    }
    false
}

/// Validate one batch, given for each pair whether its source path exists.
/// Nothing is mutated here: the caller performs the renames only when the
/// returned result has `success` set.
pub fn validate_batch(pairs: &Vec<RenamePair>, from_exists: &Vec<bool>) -> (r: ApplyResult)
    requires
        pairs@.len() == from_exists@.len(),
    ensures
        validated(batch_views(pairs@), from_exists@, r),
{
    let ghost vs = batch_views(pairs@);
    let ghost ex = from_exists@;
    if detect_target_conflict(pairs) {
        return ApplyResult { success: false, error: Some(RenameError::Conflict) };
    }
    let n = pairs.len();
    let mut i: usize = 0;
    while i < n
        invariant
            i <= n,
            n == vs.len(),
            n == ex.len(),
            vs == batch_views(pairs@),
            ex == from_exists@,
            n == pairs@.len(),
            !has_target_conflict(vs),
            forall|j: int| 0 <= j < i ==> #[trigger] pair_problem(vs[j], ex[j]) is None,
        decreases n - i,
    {
        let p = &pairs[i];
        assert(vs[i as int] == p@);
        if !from_exists[i] {
            proof {
                lemma_first_problem_at(vs, ex, 0, i as int);
            }
            return ApplyResult {
                success: false,
                error: Some(RenameError::SourceMissing(p.from.clone())),
            };
        }
        if check_escapes_source_tree(p.from.as_str(), p.to.as_str()) {
            proof {
                lemma_first_problem_at(vs, ex, 0, i as int);
            }
            return ApplyResult { success: false, error: Some(RenameError::Traversal) };
        }
        if check_invalid_components(p.to.as_str()) {
            proof {
                lemma_first_problem_at(vs, ex, 0, i as int);
            }
            return ApplyResult { success: false, error: Some(RenameError::InvalidComponents) };
        }
        i = i + 1;
    }
    proof {
        lemma_first_problem_none(vs, ex, 0);
    }
    ApplyResult { success: true, error: None }
}

/// The pairwise-reversed batch: each pair's source and destination
/// exchanged, batch order kept. Applying it undoes an applied batch.
pub fn reverse_batch(pairs: &Vec<RenamePair>) -> (r: Vec<RenamePair>)
    ensures
        batch_views(r@) == reversed_views(batch_views(pairs@)),
{
    let mut out: Vec<RenamePair> = Vec::new();
    let n = pairs.len();
    let mut i: usize = 0;
    while i < n
        invariant
            i <= n,
            n == pairs@.len(),
            out@.len() == i,
            forall|j: int| 0 <= j < i ==> #[trigger] out@[j]@ == swapped(pairs@[j]@),
        decreases n - i,
    {
        let p = &pairs[i];
        out.push(RenamePair { from: p.to.clone(), to: p.from.clone() });
        i = i + 1;
    }
    proof {
        assert(batch_views(out@) =~= reversed_views(batch_views(pairs@)));
    }
    out
}

/// Reinterpret the outcome of re-applying a batch as an undo outcome. The
/// restored count is always the number of pairs in the attempted batch,
/// whatever actually succeeded.
pub fn undo_result(outcome: ApplyResult, attempted: usize) -> (r: UndoResult)
    ensures
        r.success == outcome.success,
        r.restored_count == attempted,
        r.error == outcome.error,
{
    UndoResult { success: outcome.success, restored_count: attempted, error: outcome.error }
}

impl RenameError {
    /// The human-readable text of this error.
    pub open spec fn message_view(&self) -> Seq<char> {
        match self {
            RenameError::Conflict => "Conflicting target paths detected"@,
            RenameError::SourceMissing(p) => "Source file does not exist: "@ + p@,
            RenameError::Traversal => "Path traversal detected: target path outside allowed directory"@,
            RenameError::InvalidComponents => "Invalid path components detected"@,
        }
    }

    /// The message shown to the user for this error.
    pub fn message(&self) -> (r: String)
        ensures
            r@ == self.message_view(),
    {
        match self {
            RenameError::Conflict => String::from_str("Conflicting target paths detected"),
            RenameError::SourceMissing(p) => String::from_str("Source file does not exist: ").concat(
                p.as_str(),
            ),
            RenameError::Traversal => String::from_str(
                "Path traversal detected: target path outside allowed directory",
            ),
            RenameError::InvalidComponents => String::from_str("Invalid path components detected"),
        }
    }
}

} // verus!
