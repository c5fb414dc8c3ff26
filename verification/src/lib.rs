//! Ranks the files of a repository by how often they change and how complex
//! they are, and prepares what a dashboard shows of that ranking.

use vstd::prelude::*;
use vstd::string::StringExecFns;

pub mod churn_map;
pub mod cli;
pub mod git;
pub mod metrics;
pub mod output;
pub mod ranking;
pub mod text;

pub use crate::churn_map::ChurnMap;
pub use crate::git::{ExplorerError, RepositoryExplorer};
pub use crate::metrics::{
    metrics_per_file, Churn, CodeAnalysisReader, FileMetrics, Magnitude, MetricReader,
    ProjectAggregate, ProjectMetrics,
};
pub use crate::ranking::rank_metrics;

verus! {

/// Why no metrics could be computed.
#[derive(Debug, Clone)]
pub enum MetricsError {
    /// The change count per file could not be obtained.
    ChangeCount(ExplorerError),
}

impl MetricsError {
    /// What went wrong, in words.
    pub fn message(&self) -> (text: String)
        ensures
            text@ == "Unable to obtain the change count per file"@,
    {
        match self {
            MetricsError::ChangeCount(_) => String::from_str(
                "Unable to obtain the change count per file",
            ),
        }
    }
}

/// Ranks what was found: the files of `change_map` for which `scores` holds
/// a complexity, largest magnitude first; or hands on the reason for which
/// there is no map.
pub fn ranked_metrics(change_map: Result<ChurnMap, ExplorerError>, scores: &Vec<Option<u32>>) -> (result:
    Result<ProjectMetrics, MetricsError>)
    ensures
        match change_map {
            Ok(map) => {
                &&& churn_map::has_distinct_paths(map@)
                &&& result matches Ok(project) && ranking::is_ranked(project@)
                    && metrics::facts_of(project@).to_multiset() == metrics::joined(
                    map@,
                    scores@,
                ).to_multiset()
            },
            Err(reason) => result matches Err(MetricsError::ChangeCount(cause)) && cause == reason,
        },
{
    match change_map {
        Ok(map) => {
            let files = metrics::join_metrics(&map, scores);
            let project = rank_metrics(files);
            proof {
                ranking::lemma_facts_permuted(files@, project@);
            }
            Ok(project)
        },
        Err(reason) => Err(MetricsError::ChangeCount(reason)),
    }
}

/// Where the same complexity is found for every file of a churn map, the
/// ranking holds each file of the map once, with its churn and that
/// complexity.
pub proof fn lemma_fixed_complexity(
    entries: Seq<churn_map::ChurnEntry>,
    scores: Seq<Option<u32>>,
    complexity: u32,
    ranked: Seq<metrics::FileFacts>,
)
    requires
        churn_map::has_distinct_paths(entries),
        forall|i: int|
            0 <= i < entries.len() ==> #[trigger] metrics::score_at(scores, i) == Some(complexity),
        ranked.to_multiset() == metrics::joined(entries, scores).to_multiset(),
    ensures
        ranked.len() == entries.len(),
        metrics::has_distinct_filenames(ranked),
        forall|k: int| 0 <= k < ranked.len() ==> (#[trigger] ranked[k]).complexity == complexity,
        forall|i: int|
            0 <= i < entries.len() ==> ranked.contains(
                metrics::facts_from(#[trigger] entries[i], complexity),
            ),
{
    broadcast use {vstd::seq_lib::to_multiset_contains, vstd::seq_lib::to_multiset_len};

    let all = metrics::joined(entries, scores);
    metrics::lemma_joined_all_found(entries, scores);
    metrics::lemma_joined_distinct(entries, scores);
    ranking::lemma_permuted_names(all, ranked);
    assert(ranked.len() == ranked.to_multiset().len());
    assert(all.len() == all.to_multiset().len());
    assert forall|k: int| 0 <= k < ranked.len() implies (#[trigger] ranked[k]).complexity
        == complexity by {
        assert(ranked.contains(ranked[k]));
        assert(all.to_multiset().count(ranked[k]) > 0);
        let i = choose|i: int| 0 <= i < all.len() && all[i] == ranked[k];
        assert(metrics::score_at(scores, i) == Some(complexity));
    }
    assert forall|i: int| 0 <= i < entries.len() implies ranked.contains(
        metrics::facts_from(#[trigger] entries[i], complexity),
    ) by {
        assert(metrics::score_at(scores, i) == Some(complexity));
        assert(all[i] == metrics::facts_from(entries[i], complexity));
        assert(all.contains(all[i]));
        assert(ranked.to_multiset().count(all[i]) > 0);
    }
}

/// `result` is what follows from `outcome`, the answer of the explorer. On a
/// churn map, which names no path twice, it is the ranking of the files of
/// that map for which `reader` answered with a complexity, each with its
/// churn and that complexity; on a failure it is the error that hands the
/// reason on.
pub open spec fn follows_from<R: MetricReader>(
    result: Result<ProjectMetrics, MetricsError>,
    outcome: Result<ChurnMap, ExplorerError>,
    reader: &R,
) -> bool {
    match outcome {
        Ok(map) => churn_map::has_distinct_paths(map@) && (result matches Ok(project)
            && ranking::is_ranked(project@) && metrics::has_distinct_filenames(
            metrics::facts_of(project@),
        ) && exists|
            scores: Seq<Option<u32>>,
        |
            metrics::answers(reader, map@, scores) && metrics::facts_of(project@).to_multiset()
                == #[trigger] metrics::joined(map@, scores).to_multiset()),
        Err(reason) => result matches Err(MetricsError::ChangeCount(cause)) && cause == reason,
    }
}

/// The metrics of every file that `git_explorer` names and `reader` can
/// analyse, largest magnitude first. The explorer is asked once, and the
/// result follows from its answer: it fails exactly where the explorer does.
pub fn get_metrics<E: RepositoryExplorer, R: MetricReader>(git_explorer: E, reader: R) -> (result:
    Result<ProjectMetrics, MetricsError>)
    ensures
        exists|outcome: Result<ChurnMap, ExplorerError>| #[trigger]
            call_ensures(E::change_count_per_file, (&git_explorer,), outcome) && follows_from(
                result,
                outcome,
                &reader,
            ),
        result matches Ok(project) ==> ranking::is_ranked(project@)
            && metrics::has_distinct_filenames(metrics::facts_of(project@)),
{
    let outcome = git_explorer.change_count_per_file();
    let ghost answer = outcome;
    let result = match outcome {
        Ok(change_map) => {
            let files = metrics_per_file(change_map, reader);
            let project = rank_metrics(files);
            proof {
                ranking::lemma_facts_permuted(files@, project@);
            }
            Ok(project)
        },
        Err(reason) => Err(MetricsError::ChangeCount(reason)),
    };
    assert(call_ensures(E::change_count_per_file, (&git_explorer,), answer));
    assert(follows_from(result, answer, &reader));
    result
}

} // verus!
