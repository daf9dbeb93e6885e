//! Working-tree changes relative to HEAD.
use crate::text::{contains_text, owned, views};
use vstd::prelude::*;

verus! {

/// Status of a file in the working tree relative to HEAD.
#[derive(Debug, Clone, Copy, PartialEq, Eq, Structural)]
pub enum FileStatus {
    /// Exists in HEAD and in the working tree, content differs.
    Modified,
    /// Exists in the working tree only.
    Added,
    /// Exists in HEAD only.
    Deleted,
}

/// A single changed file.
#[derive(Debug, Clone, PartialEq)]
pub struct ChangedFile {
    pub path: String,
    pub status: FileStatus,
}

/// The changed files of the working tree.
#[derive(Debug, Clone, PartialEq)]
pub struct DiffResult {
    /// Files that were modified, added or deleted.
    pub changed_files: Vec<ChangedFile>,
    /// HEAD commit hash (short form).
    pub head_commit: String,
    /// Whether the working tree is clean (no changes).
    pub is_clean: bool,
}

/// The status of an indexed file the index reports as modified: deleted when
/// it is gone from the working tree, modified otherwise.
pub open spec fn indexed_change_status(exists: bool) -> FileStatus {
    if exists { FileStatus::Modified } else { FileStatus::Deleted }
}

/// The changes of indexed files the index reports as modified, given
/// whether each still exists.
pub open spec fn indexed_changes(modified: Seq<(String, bool)>) -> Seq<(Seq<char>, FileStatus)> {
    modified.map_values(|m: (String, bool)| (m.0@, indexed_change_status(m.1)))
}

/// The working-tree files that are not indexed, as added files, in order.
pub open spec fn unindexed_changes(walked: Seq<Seq<char>>, indexed: Seq<Seq<char>>) -> Seq<(Seq<char>, FileStatus)>
    decreases walked.len(),
{
    if walked.len() == 0 {
        Seq::empty()
    } else {
        unindexed_changes(walked.drop_last(), indexed) + if indexed.contains(walked.last()) {
            Seq::empty()
        } else {
            seq![(walked.last(), FileStatus::Added)]
        }
    }
}

/// The changed files of a diff as plain values.
pub open spec fn change_views(changes: Seq<ChangedFile>) -> Seq<(Seq<char>, FileStatus)> {
    changes.map_values(|c: ChangedFile| (c.path@, c.status))
}

/// The diff of the working tree against HEAD: the indexed files the index
/// reports as modified (deleted when gone), then the working-tree files
/// that are not indexed (added); clean exactly when there are none.
pub fn assemble_diff(
    modified: &Vec<(String, bool)>,
    walked: &Vec<String>,
    indexed: &Vec<String>,
    head_commit: String,
) -> (d: DiffResult)
    ensures
        change_views(d.changed_files@) == indexed_changes(modified@) + unindexed_changes(views(walked@), views(indexed@)),
        d.head_commit == head_commit,
        d.is_clean == (d.changed_files@.len() == 0),
{
    let mut changes: Vec<ChangedFile> = Vec::new();
    let mut i: usize = 0;
    while i < modified.len()
        invariant
            i <= modified.len(),
            change_views(changes@) == indexed_changes(modified@.take(i as int)),
        decreases modified.len() - i,
    {
        let status = if modified[i].1 { FileStatus::Modified } else { FileStatus::Deleted };
        let c = ChangedFile { path: owned(modified[i].0.as_str()), status };
        let ghost before = changes@;
        assert(c.path@ == modified@[i as int].0@);
        assert(c.status == indexed_change_status(modified@[i as int].1));
        changes.push(c);
        assert(change_views(changes@) =~= change_views(before).push((c.path@, c.status)));
        assert(indexed_changes(modified@.take(i + 1)) =~= indexed_changes(modified@.take(i as int)).push((c.path@, c.status)));
        i = i + 1;
    }
    assert(modified@.take(modified.len() as int) =~= modified@);
    let ghost base = change_views(changes@);
    let ghost wv = views(walked@);
    let mut k: usize = 0;
    assert(wv.take(0) =~= Seq::<Seq<char>>::empty());
    assert(base + Seq::<(Seq<char>, FileStatus)>::empty() =~= base);
    while k < walked.len()
        invariant
            k <= walked.len(),
            wv == views(walked@),
            change_views(changes@) == base + unindexed_changes(wv.take(k as int), views(indexed@)),
        decreases walked.len() - k,
    {
        proof {
            assert(wv.take(k + 1).drop_last() =~= wv.take(k as int));
            assert(wv.take(k + 1).last() == walked@[k as int]@);
        }
        let ghost before = change_views(changes@);
        if !contains_text(indexed, walked[k].as_str()) {
            let c = ChangedFile { path: owned(walked[k].as_str()), status: FileStatus::Added };
            changes.push(c);
            assert(change_views(changes@) =~= before.push((walked@[k as int]@, FileStatus::Added)));
        }
        assert(change_views(changes@) =~= base + unindexed_changes(wv.take(k + 1), views(indexed@)));
        k = k + 1;
    }
    assert(wv.take(walked.len() as int) =~= wv);
    let is_clean = changes.len() == 0;
    DiffResult { changed_files: changes, head_commit, is_clean }
}

} // verus!
