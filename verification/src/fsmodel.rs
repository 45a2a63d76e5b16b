//! A mathematical model of the filesystem under a rename batch.
//!
//! The filesystem is a map from path strings to file contents. A rename
//! moves one file from its source path to its destination path, content
//! untouched, and a whole batch is the renames applied in batch order. The
//! model supports the central restoration law: a clean batch followed by
//! its pairwise-reversed batch puts every file back where it was.

use vstd::prelude::*;
use crate::batch::PairModel;
use crate::batch::has_target_conflict;
use crate::batch::reversed_views;
use crate::batch::swapped;

verus! {

/// The filesystem as the executor sees it: each existing file's path
/// mapped to its content.
pub type FsModel = Map<Seq<char>, Seq<u8>>;

/// One rename: the file at the source path moves to the destination path,
/// its content untouched. A rename whose source is absent changes nothing
/// (the executor would have stopped on it instead).
pub open spec fn rename_step(fs: FsModel, p: PairModel) -> FsModel {
    if fs.dom().contains(p.from) {
        fs.remove(p.from).insert(p.to, fs[p.from])
    } else {
        fs
    }
}

/// The filesystem after a whole batch, pairs applied in batch order.
pub open spec fn apply_batch(fs: FsModel, vs: Seq<PairModel>) -> FsModel
    decreases vs.len(),
{
    if vs.len() == 0 {
        fs
    } else {
        apply_batch(rename_step(fs, vs[0]), vs.subrange(1, vs.len() as int))
    }
}

/// No two pairs move the same source.
pub open spec fn distinct_sources(vs: Seq<PairModel>) -> bool {
    forall|i: int, j: int| 0 <= i < j < vs.len() ==> #[trigger] vs[i].from != #[trigger] vs[j].from
}

/// No pair's source is any pair's destination: the batch moves files onto
/// paths it does not itself move away from.
pub open spec fn sources_destinations_disjoint(vs: Seq<PairModel>) -> bool {
    forall|i: int, j: int|
        0 <= i < vs.len() && 0 <= j < vs.len() ==> #[trigger] vs[i].from != #[trigger] vs[j].to
}

/// Every source path names an existing file.
pub open spec fn sources_present(fs: FsModel, vs: Seq<PairModel>) -> bool {
    forall|i: int| 0 <= i < vs.len() ==> fs.dom().contains(#[trigger] vs[i].from)
}

/// No destination path names an existing file, so no rename overwrites.
pub open spec fn destinations_fresh(fs: FsModel, vs: Seq<PairModel>) -> bool {
    forall|i: int| 0 <= i < vs.len() ==> !fs.dom().contains(#[trigger] vs[i].to)
}

/// A clean batch against a filesystem: all sources distinct and present,
/// all destinations distinct, fresh, and touching no source. Its renames
/// are independent moves onto free paths.
pub open spec fn clean_batch(fs: FsModel, vs: Seq<PairModel>) -> bool {
    &&& distinct_sources(vs)
    &&& !has_target_conflict(vs)
    &&& sources_destinations_disjoint(vs)
    &&& sources_present(fs, vs)
    &&& destinations_fresh(fs, vs)
}

/// Renames over disjoint path pairs commute.
proof fn lemma_step_step_commute(fs: FsModel, p: PairModel, q: PairModel)
    requires
        p.from != q.from,
        p.from != q.to,
        p.to != q.from,
        p.to != q.to,
    ensures
        rename_step(rename_step(fs, p), q) == rename_step(rename_step(fs, q), p),
{
    assert(rename_step(rename_step(fs, p), q) =~= rename_step(rename_step(fs, q), p));
}

/// A rename over paths that a batch never touches commutes with the whole
/// batch.
proof fn lemma_step_commutes_with_batch(fs: FsModel, vs: Seq<PairModel>, q: PairModel)
    requires
        forall|i: int|
            0 <= i < vs.len() ==> (#[trigger] vs[i]).from != q.from && vs[i].from != q.to
                && vs[i].to != q.from && vs[i].to != q.to,
    ensures
        rename_step(apply_batch(fs, vs), q) == apply_batch(rename_step(fs, q), vs),
    decreases vs.len(),
{
    if vs.len() > 0 {
        let p0 = vs[0];
        let rest = vs.subrange(1, vs.len() as int);
        lemma_step_commutes_with_batch(rename_step(fs, p0), rest, q);
        lemma_step_step_commute(fs, p0, q);
    }
}

/// Law: applying a clean batch and then its pairwise-reversed batch puts
/// every file back at its original path, content untouched. Cleanness is
/// needed: a rename onto an already-existing path overwrites that file,
/// and a batch that moves one path twice or moves a file onto another
/// pair's source can leave content behind that no reversal brings back.
pub proof fn lemma_apply_then_reverse_restores(fs: FsModel, vs: Seq<PairModel>)
    requires
        clean_batch(fs, vs),
    ensures
        apply_batch(apply_batch(fs, vs), reversed_views(vs)) == fs,
    decreases vs.len(),
{
    let rv = reversed_views(vs);
    if vs.len() == 0 {
        assert(apply_batch(apply_batch(fs, vs), rv) == fs);
    } else {
        let p0 = vs[0];
        let rest = vs.subrange(1, vs.len() as int);
        let fs1 = rename_step(fs, p0);
        let e = apply_batch(fs1, rest);
        assert(rv[0] == swapped(p0));
        assert(rv.subrange(1, rv.len() as int) =~= reversed_views(rest));
        assert(apply_batch(fs, vs) == e);
        assert(apply_batch(e, rv) == apply_batch(rename_step(e, swapped(p0)), reversed_views(rest)));
        assert forall|i: int|
            0 <= i < rest.len() implies (#[trigger] rest[i]).from != swapped(p0).from && rest[i].from
            != swapped(p0).to && rest[i].to != swapped(p0).from && rest[i].to != swapped(p0).to by {
            assert(rest[i] == vs[i + 1]);
        }
        lemma_step_commutes_with_batch(fs1, rest, swapped(p0));
        assert(rename_step(fs1, swapped(p0)) =~= fs);
        assert(rename_step(e, swapped(p0)) == apply_batch(fs, rest));
        assert(clean_batch(fs, rest)) by {
            assert forall|i: int| 0 <= i < rest.len() implies fs.dom().contains(
                (#[trigger] rest[i]).from,
            ) && !fs.dom().contains(rest[i].to) by {
                assert(rest[i] == vs[i + 1]);
            }
            assert forall|i: int, j: int| 0 <= i < j < rest.len() implies (#[trigger] rest[i]).from
                != (#[trigger] rest[j]).from by {
                assert(rest[i] == vs[i + 1]);
                assert(rest[j] == vs[j + 1]);
            }
            assert(!has_target_conflict(rest)) by {
                if has_target_conflict(rest) {
                    let (i, j) = choose|i: int, j: int|
                        0 <= i < j < rest.len() && #[trigger] rest[i].to == #[trigger] rest[j].to;
                    assert(vs[i + 1].to == vs[j + 1].to);
                }
            }
            assert forall|i: int, j: int|
                0 <= i < rest.len() && 0 <= j < rest.len() implies (#[trigger] rest[i]).from != (
            #[trigger] rest[j]).to by {
                assert(rest[i] == vs[i + 1]);
                assert(rest[j] == vs[j + 1]);
            }
        }
        lemma_apply_then_reverse_restores(fs, rest);
    }
}

} // verus!
