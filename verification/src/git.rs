use crate::churn_map::{
    can_count, count_of, counted, has_distinct_paths, lemma_counted, ChurnEntry, ChurnMap,
};
use vstd::prelude::*;

verus! {

/// Why the history of a repository could not be read.
#[derive(Debug, Clone)]
pub struct ExplorerError {
    pub reason: String,
}

/// Knows how often each file of a repository changed.
pub trait RepositoryExplorer {
    /// The churn of every file that the history of the repository names, or
    /// the reason for which the history could not be read.
    fn change_count_per_file(&self) -> Result<ChurnMap, ExplorerError>;
}

/// What an entry of a commit's tree is.
#[derive(Debug, Clone, Copy, PartialEq, Eq, Structural)]
pub enum EntryMode {
    Tree,
    Blob,
    BlobExecutable,
    Link,
    Commit,
}

/// One entry of a commit's tree, found by walking the tree.
#[derive(Debug, Clone)]
pub struct TreeEntry {
    pub mode: EntryMode,
    pub filepath: String,
}

/// Whether the entry counts as a change of a file: regular files do.
pub open spec fn is_counted(entry: TreeEntry) -> bool {
    entry.mode == EntryMode::Blob
}

/// `entries` after each of `records` that is a regular file was counted as
/// one change of its path, in their order.
pub open spec fn tallied(entries: Seq<ChurnEntry>, records: Seq<TreeEntry>) -> Seq<ChurnEntry>
    decreases records.len(),
{
    if records.len() == 0 {
        entries
    } else {
        let before = tallied(entries, records.drop_last());
        if is_counted(records.last()) {
            counted(before, records.last().filepath@)
        } else {
            before
        }
    }
}

/// Whether all of `records` can be counted: no churn would pass the largest
/// that the type holds.
pub open spec fn can_tally(entries: Seq<ChurnEntry>, records: Seq<TreeEntry>) -> bool
    decreases records.len(),
{
    if records.len() == 0 {
        true
    } else {
        &&& can_tally(entries, records.drop_last())
        &&& is_counted(records.last()) ==> can_count(
            tallied(entries, records.drop_last()),
            records.last().filepath@,
        )
    }
}

/// How many of `records` are regular files at `path`.
pub open spec fn changes_of(records: Seq<TreeEntry>, path: Seq<char>) -> nat
    decreases records.len(),
{
    if records.len() == 0 {
        0
    } else {
        changes_of(records.drop_last(), path) + if is_counted(records.last())
            && records.last().filepath@ == path {
            1nat
        } else {
            0nat
        }
    }
}

/// After a tally the churn of each path is what it was, plus the number of
/// records that are regular files at that path.
pub proof fn lemma_tally_counts(entries: Seq<ChurnEntry>, records: Seq<TreeEntry>, path: Seq<char>)
    requires
        has_distinct_paths(entries),
        can_tally(entries, records),
    ensures
        has_distinct_paths(tallied(entries, records)),
        count_of(tallied(entries, records), path) == count_of(entries, path) + changes_of(
            records,
            path,
        ),
    decreases records.len(),
{
    if records.len() > 0 {
        lemma_tally_counts(entries, records.drop_last(), path);
        if is_counted(records.last()) {
            lemma_counted(tallied(entries, records.drop_last()), records.last().filepath@, path);
        }
    }
}

/// Counts each of `records` that is a regular file as one change of its
/// path. Stops at the first that cannot be counted, and then answers
/// `false`; what came before it is counted.
pub fn count_changes(change_map: &mut ChurnMap, records: &Vec<TreeEntry>) -> (complete: bool)
    ensures
        has_distinct_paths(final(change_map)@),
        complete == can_tally(old(change_map)@, records@),
        complete ==> final(change_map)@ == tallied(old(change_map)@, records@),
        !complete ==> exists|k: int|
            0 <= k < records@.len() && can_tally(old(change_map)@, #[trigger] records@.take(k))
                && !can_tally(old(change_map)@, records@.take(k + 1)) && final(change_map)@
                == tallied(old(change_map)@, records@.take(k)),
{
    proof {
        use_type_invariant(&*change_map);
        change_map.lemma_distinct();
    }
    let mut i: usize = 0;
    assert(records@.take(0) =~= Seq::empty());
    while i < records.len()
        invariant
            i <= records@.len(),
            has_distinct_paths(change_map@),
            can_tally(old(change_map)@, records@.take(i as int)),
            change_map@ == tallied(old(change_map)@, records@.take(i as int)),
        decreases records@.len() - i,
    {
        proof {
            assert(records@.take(i + 1).drop_last() =~= records@.take(i as int));
        }
        let entry = &records[i];
        let counts = match entry.mode {
            EntryMode::Blob => true,
            _ => false,
        };
        if counts {
            if !change_map.record(entry.filepath.as_str()) {
                proof {
                    lemma_stays_short(old(change_map)@, records@, i + 1);
                }
                return false;
            }
        }
        i += 1;
    }
    assert(records@.take(i as int) =~= records@);
    true
}

/// What cannot be counted up to some record cannot be counted to the end.
proof fn lemma_stays_short(entries: Seq<ChurnEntry>, records: Seq<TreeEntry>, k: int)
    requires
        0 <= k <= records.len(),
        !can_tally(entries, records.take(k)),
    ensures
        !can_tally(entries, records),
    decreases records.len() - k,
{
    if k < records.len() {
        assert(records.take(k + 1).drop_last() =~= records.take(k));
        lemma_stays_short(entries, records, k + 1);
    } else {
        assert(records.take(k) =~= records);
    }
}

} // verus!
