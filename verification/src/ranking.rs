use crate::metrics::{facts_of, has_distinct_filenames, FileFacts, FileMetrics, ProjectMetrics};
use vstd::prelude::*;

verus! {

/// No file of `files` stands behind one of smaller magnitude.
pub open spec fn is_ranked(files: Seq<FileMetrics>) -> bool {
    forall|i: int, j: int|
        0 <= i <= j < files.len() ==> (#[trigger] files[i]).spec_magnitude() >= (
        #[trigger] files[j]).spec_magnitude()
}

/// In a ranked sequence each file is at least as far from the origin as the
/// one that follows it.
pub proof fn lemma_ranked_neighbours(files: Seq<FileMetrics>, i: int)
    requires
        is_ranked(files),
        0 <= i,
        i + 1 < files.len(),
    ensures
        files[i].spec_magnitude() >= files[i + 1].spec_magnitude(),
{
}

/// Where each file is at least as far from the origin as the one that
/// follows it, the sequence is ranked.
pub proof fn lemma_neighbours_ranked(files: Seq<FileMetrics>)
    requires
        forall|i: int|
            0 <= i && i + 1 < files.len() ==> (#[trigger] files[i]).spec_magnitude()
                >= files[i + 1].spec_magnitude(),
    ensures
        is_ranked(files),
{
    assert forall|i: int, j: int| 0 <= i <= j < files.len() implies (
    #[trigger] files[i]).spec_magnitude() >= (#[trigger] files[j]).spec_magnitude() by {
        lemma_chain(files, i, j);
    }
}

proof fn lemma_chain(files: Seq<FileMetrics>, i: int, j: int)
    requires
        forall|k: int|
            0 <= k && k + 1 < files.len() ==> (#[trigger] files[k]).spec_magnitude()
                >= files[k + 1].spec_magnitude(),
        0 <= i <= j < files.len(),
    ensures
        files[i].spec_magnitude() >= files[j].spec_magnitude(),
    decreases j - i,
{
    if i < j {
        lemma_chain(files, i, j - 1);
        assert(files[j - 1].spec_magnitude() >= files[j - 1 + 1].spec_magnitude());
    }
}

/// Two orders of the same files state the same facts, each as often as the
/// other.
pub proof fn lemma_facts_permuted(files: Seq<FileMetrics>, ranked: Seq<FileMetrics>)
    requires
        ranked.to_multiset() == files.to_multiset(),
    ensures
        facts_of(ranked).to_multiset() == facts_of(files).to_multiset(),
        facts_of(ranked).len() == facts_of(files).len(),
        has_distinct_filenames(facts_of(files)) ==> has_distinct_filenames(facts_of(ranked)),
    decreases files.len(),
{
    broadcast use {
        vstd::seq_lib::to_multiset_len,
        vstd::seq_lib::to_multiset_contains,
        vstd::multiset::group_multiset_axioms,
    };

    assert(files.len() == files.to_multiset().len());
    assert(ranked.len() == ranked.to_multiset().len());
    if files.len() == 0 {
        assert(facts_of(ranked) =~= facts_of(files));
    } else {
        let last = files.last();
        let shorter = files.drop_last();
        assert(files =~= shorter.push(last));
        vstd::seq_lib::to_multiset_build(shorter, last);
        assert(files.to_multiset().count(last) > 0);
        assert(ranked.contains(last));
        let k = choose|k: int| 0 <= k < ranked.len() && ranked[k] == last;
        let others = ranked.remove(k);
        vstd::seq_lib::to_multiset_remove(ranked, k);
        assert(others.to_multiset() =~= shorter.to_multiset());
        lemma_facts_permuted(shorter, others);
        assert(facts_of(files) =~= facts_of(shorter).push(last@));
        assert(facts_of(ranked) =~= facts_of(others).insert(k, last@));
        vstd::seq_lib::to_multiset_build(facts_of(shorter), last@);
        vstd::seq_lib::to_multiset_insert(facts_of(others), k, last@);
    }
    if has_distinct_filenames(facts_of(files)) {
        lemma_permuted_names(facts_of(files), facts_of(ranked));
    }
}

/// Facts that name no file twice do not do so in another order either.
pub proof fn lemma_permuted_names(facts: Seq<FileFacts>, permuted: Seq<FileFacts>)
    requires
        permuted.to_multiset() == facts.to_multiset(),
        has_distinct_filenames(facts),
    ensures
        has_distinct_filenames(permuted),
{
    broadcast use {vstd::seq_lib::to_multiset_contains, vstd::multiset::group_multiset_axioms};

    assert(facts.no_duplicates());
    facts.lemma_multiset_has_no_duplicates();
    permuted.lemma_multiset_has_no_duplicates_conv();
    assert forall|i: int, j: int|
        0 <= i < permuted.len() && 0 <= j < permuted.len() && (#[trigger] permuted[i]).filename == (
        #[trigger] permuted[j]).filename implies i == j by {
        assert(permuted.contains(permuted[i]));
        assert(permuted.contains(permuted[j]));
        assert(facts.to_multiset().count(permuted[i]) > 0);
        assert(facts.to_multiset().count(permuted[j]) > 0);
        let a = choose|a: int| 0 <= a < facts.len() && facts[a] == permuted[i];
        let b = choose|b: int| 0 <= b < facts.len() && facts[b] == permuted[j];
        assert(facts[a].filename == facts[b].filename);
        assert(a == b);
    }
}

/// Where `file` belongs among the ranked `files`: behind every file that is
/// at least as far from the origin, before every closer one.
fn rank_position(files: &Vec<FileMetrics>, file: &FileMetrics) -> (at: usize)
    requires
        is_ranked(files@),
    ensures
        at <= files.len(),
        forall|k: int| 0 <= k < at ==> (#[trigger] files@[k]).spec_magnitude() >= file.spec_magnitude(),
        forall|k: int|
            at <= k < files.len() ==> (#[trigger] files@[k]).spec_magnitude() < file.spec_magnitude(),
{
    let key = file.magnitude();
    let mut at: usize = 0;
    while at < files.len() && files[at].magnitude().at_least(key)
        invariant
            at <= files.len(),
            key@ == file.spec_magnitude(),
            forall|k: int|
                0 <= k < at ==> (#[trigger] files@[k]).spec_magnitude() >= file.spec_magnitude(),
        decreases files.len() - at,
    {
        at += 1;
    }
    at
}

/// Orders the files by magnitude, largest first. Every file is kept, none is
/// added.
pub fn rank_metrics(metrics: Vec<FileMetrics>) -> (ranked: ProjectMetrics)
    ensures
        is_ranked(ranked@),
        ranked@.to_multiset() == metrics@.to_multiset(),
        facts_of(ranked@).to_multiset() == facts_of(metrics@).to_multiset(),
        ranked@.len() == metrics@.len(),
{
    broadcast use {vstd::seq_lib::to_multiset_len, vstd::multiset::group_multiset_axioms};

    let mut rest = metrics;
    let mut ranked: Vec<FileMetrics> = Vec::new();
    assert(rest@ + ranked@ =~= metrics@);
    while rest.len() > 0
        invariant
            is_ranked(ranked@),
            (rest@ + ranked@).to_multiset() == metrics@.to_multiset(),
        decreases rest.len(),
    {
        let ghost before = rest@;
        let ghost sorted = ranked@;
        let file = rest.pop().unwrap();
        let at = rank_position(&ranked, &file);
        ranked.insert(at, file);
        proof {
            assert(before =~= rest@.push(file));
            assert(ranked@ == sorted.insert(at as int, file));
            vstd::seq_lib::lemma_multiset_commutative(before, sorted);
            vstd::seq_lib::lemma_multiset_commutative(rest@, ranked@);
            vstd::seq_lib::to_multiset_build(rest@, file);
            vstd::seq_lib::to_multiset_insert(sorted, at as int, file);
            assert(before.to_multiset() =~= rest@.to_multiset().insert(file));
            assert(ranked@.to_multiset() =~= sorted.to_multiset().insert(file));
            assert((rest@ + ranked@).to_multiset() =~= (before + sorted).to_multiset());
            assert forall|i: int, j: int| 0 <= i <= j < ranked@.len() implies (
            #[trigger] ranked@[i]).spec_magnitude() >= (#[trigger] ranked@[j]).spec_magnitude() by {
                if i < at && j > at {
                    assert(sorted[i].spec_magnitude() >= sorted[j - 1].spec_magnitude());
                } else if i > at {
                    assert(sorted[i - 1].spec_magnitude() >= sorted[j - 1].spec_magnitude());
                } else if j < at {
                    assert(sorted[i].spec_magnitude() >= sorted[j].spec_magnitude());
                } else if i == at && j > at {
                    assert(sorted[j - 1].spec_magnitude() < file.spec_magnitude());
                } else if i < at && j == at {
                    assert(sorted[i].spec_magnitude() >= file.spec_magnitude());
                }
            }
        }
    }
    assert(rest@ + ranked@ =~= ranked@);
    assert(ranked@.len() == ranked@.to_multiset().len());
    assert(metrics@.len() == metrics@.to_multiset().len());
    proof {
        lemma_facts_permuted(metrics@, ranked@);
    }
    ProjectMetrics::new(ranked)
}

} // verus!
