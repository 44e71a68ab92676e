use vstd::prelude::*;
use crate::compare::{FileStatus, FileEntry, EntryModel, entry_views};
use crate::tree::{FileTreeNode, forest_is, build_model, build_file_tree};

verus! {

/// The answer to a tree comparison: the display tree, the changed entries,
/// and how many files were added, deleted and modified.
#[derive(Debug)]
pub struct FileTreeResult {
    pub tree: Vec<FileTreeNode>,
    pub files: Vec<FileEntry>,
    pub total_changes: usize,
    pub added: usize,
    pub deleted: usize,
    pub modified: usize,
}

/// How many of `es` have status `st`.
pub open spec fn count_status(es: Seq<EntryModel>, st: FileStatus) -> nat
    decreases es.len(),
{
    if es.len() == 0 {
        0
    } else {
        count_status(es.drop_last(), st) + (if es.last().status == st { 1nat } else { 0nat })
    }
}

/// The entries of `es` that are not Unchanged, in order.
pub open spec fn changed(es: Seq<EntryModel>) -> Seq<EntryModel>
    decreases es.len(),
{
    if es.len() == 0 {
        Seq::empty()
    } else if es.last().status == FileStatus::Unchanged {
        changed(es.drop_last())
    } else {
        changed(es.drop_last()).push(es.last())
    }
}

proof fn lemma_count_le(es: Seq<EntryModel>, st: FileStatus)
    ensures
        count_status(es, st) <= es.len(),
    decreases es.len(),
{
    if es.len() > 0 {
        lemma_count_le(es.drop_last(), st);
    }
}

proof fn lemma_counts_sum(es: Seq<EntryModel>)
    ensures
        count_status(es, FileStatus::Added) + count_status(es, FileStatus::Deleted)
            + count_status(es, FileStatus::Modified) <= es.len(),
    decreases es.len(),
{
    if es.len() > 0 {
        lemma_counts_sum(es.drop_last());
    }
}

/// Summarises the entries of a comparison: its display tree, its changed
/// entries, and the counts of added, deleted and modified files.
pub fn file_tree_result(entries: Vec<FileEntry>) -> (r: FileTreeResult)
    ensures
        forest_is(r.tree@, build_model(entry_views(entries@))),
        entry_views(r.files@) == changed(entry_views(entries@)),
        r.added == count_status(entry_views(entries@), FileStatus::Added),
        r.deleted == count_status(entry_views(entries@), FileStatus::Deleted),
        r.modified == count_status(entry_views(entries@), FileStatus::Modified),
        r.total_changes == r.added + r.deleted + r.modified,
{
    let tree = build_file_tree(entries.as_slice());
    let ghost es = entry_views(entries@);
    let total = entries.len();
    let mut rest = entries;
    let mut files: Vec<FileEntry> = Vec::new();
    let mut added: usize = 0;
    let mut deleted: usize = 0;
    let mut modified: usize = 0;
    let mut i: usize = 0;
    while rest.len() > 0
        invariant
            i + rest.len() == total,
            es.len() == total,
            entry_views(rest@) == es.skip(i as int),
            entry_views(files@) == changed(es.take(i as int)),
            added == count_status(es.take(i as int), FileStatus::Added),
            deleted == count_status(es.take(i as int), FileStatus::Deleted),
            modified == count_status(es.take(i as int), FileStatus::Modified),
            added + deleted + modified <= i,
        decreases rest.len(),
    {
        let ghost old_rest = rest@;
        let e = rest.remove(0);
        assert(old_rest[0]@ == entry_views(old_rest)[0]);
        assert forall|m: int| 0 <= m < rest.len() implies #[trigger] entry_views(rest@)[m] == es.skip(
            i as int + 1,
        )[m] by {
            assert(rest@[m] == old_rest[m + 1]);
            assert(entry_views(old_rest)[m + 1] == old_rest[m + 1]@);
            assert(es.skip(i as int)[m + 1] == es[i + 1 + m]);
        }
        assert(entry_views(rest@) =~= es.skip(i as int + 1));
        assert(es.take(i as int + 1).drop_last() =~= es.take(i as int));
        assert(es.take(i as int + 1).last() == e@);
        match e.status {
            FileStatus::Added => added += 1,
            FileStatus::Deleted => deleted += 1,
            FileStatus::Modified => modified += 1,
            _ => {},
        }
        if e.status != FileStatus::Unchanged {
            let ghost before = entry_views(files@);
            let ghost ev = e@;
            files.push(e);
            assert(entry_views(files@) =~= before.push(ev));
        }
        i += 1;
    }
    assert(es.take(total as int) =~= es);
    FileTreeResult { tree, files, total_changes: added + deleted + modified, added, deleted, modified }
}

} // verus!
