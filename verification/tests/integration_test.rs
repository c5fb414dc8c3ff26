use quality_time::git::ExplorerError;
use quality_time::{
    get_metrics, rank_metrics, ranked_metrics, Churn, ChurnMap, FileMetrics, MetricReader,
    MetricsError, RepositoryExplorer,
};

struct TestReader {}

impl MetricReader for TestReader {
    fn get_cyclomatic_from_path_and_content(&self, _path: &str) -> Option<u32> {
        Some(1)
    }
}

struct TestExplorer {}

impl RepositoryExplorer for TestExplorer {
    fn change_count_per_file(&self) -> Result<ChurnMap, ExplorerError> {
        let mut map = ChurnMap::new();
        map.insert("file", Churn::from(1));
        Ok(map)
    }
}

struct TwoFiles {
    churn_of_a: u32,
    churn_of_b: u32,
}

impl RepositoryExplorer for TwoFiles {
    fn change_count_per_file(&self) -> Result<ChurnMap, ExplorerError> {
        let mut map = ChurnMap::new();
        map.insert("a.rs", Churn::from(self.churn_of_a));
        map.insert("b.rs", Churn::from(self.churn_of_b));
        Ok(map)
    }
}

struct NoRepository {}

impl RepositoryExplorer for NoRepository {
    fn change_count_per_file(&self) -> Result<ChurnMap, ExplorerError> {
        Err(ExplorerError { reason: "Repository not found or without commits".to_string() })
    }
}

struct ByName {}

impl MetricReader for ByName {
    fn get_cyclomatic_from_path_and_content(&self, path: &str) -> Option<u32> {
        match path {
            "a.rs" => Some(10),
            "b.rs" => Some(2),
            _ => None,
        }
    }
}

struct OnlyA {}

impl MetricReader for OnlyA {
    fn get_cyclomatic_from_path_and_content(&self, path: &str) -> Option<u32> {
        if path == "a.rs" {
            Some(3)
        } else {
            None
        }
    }
}

#[test]
fn list_metrics() {
    let metrics = get_metrics(TestExplorer {}, TestReader {}).expect("metrics");

    assert!(!metrics.file_metrics().is_empty())
}

#[test]
fn ranks_by_magnitude_end_to_end() {
    let metrics =
        get_metrics(TwoFiles { churn_of_a: 5, churn_of_b: 1 }, ByName {}).expect("metrics");
    let files = metrics.file_metrics();

    assert_eq!(files.len(), 2);
    assert_eq!(files[0], FileMetrics::new("a.rs".to_string(), Churn::from(5), 10));
    assert_eq!(files[1], FileMetrics::new("b.rs".to_string(), Churn::from(1), 2));
    assert_eq!(files[0].magnitude().squared(), 125);
    assert_eq!(files[1].magnitude().squared(), 5);
    assert!(((files[0].magnitude().squared() as f64).sqrt() - 11.18).abs() < 0.005);
    assert!(((files[1].magnitude().squared() as f64).sqrt() - 2.24).abs() < 0.005);
}

#[test]
fn leaves_out_the_file_that_cannot_be_analysed() {
    let metrics =
        get_metrics(TwoFiles { churn_of_a: 1, churn_of_b: 1 }, OnlyA {}).expect("metrics");

    assert_eq!(
        metrics.file_metrics(),
        &vec![FileMetrics::new("a.rs".to_string(), Churn::from(1), 3)]
    );
}

#[test]
fn fails_where_the_explorer_fails() {
    let result = get_metrics(NoRepository {}, TestReader {});
    match result {
        Err(MetricsError::ChangeCount(cause)) => {
            assert_eq!(cause.reason, "Repository not found or without commits")
        }
        Ok(_) => panic!("no metrics without a repository"),
    }
}

#[test]
fn ranked_metrics_hands_the_error_on() {
    let failed = Err(ExplorerError { reason: "gone".to_string() });
    match ranked_metrics(failed, &vec![Some(1)]) {
        Err(MetricsError::ChangeCount(cause)) => assert_eq!(cause.reason, "gone"),
        Ok(_) => panic!("no metrics without a map"),
    }
    assert_eq!(
        MetricsError::ChangeCount(ExplorerError { reason: "gone".to_string() }).message(),
        "Unable to obtain the change count per file"
    );
}

#[test]
fn ranked_metrics_joins_and_ranks() {
    let mut map = ChurnMap::new();
    map.insert("low", Churn::from(1));
    map.insert("none", Churn::from(100));
    map.insert("high", Churn::from(8));

    let project = ranked_metrics(Ok(map), &vec![Some(1), None, Some(6)]).expect("metrics");

    assert_eq!(
        project.file_metrics(),
        &vec![
            FileMetrics::new("high".to_string(), Churn::from(8), 6),
            FileMetrics::new("low".to_string(), Churn::from(1), 1),
        ]
    );
}

#[test]
fn rank_puts_the_largest_magnitude_first() {
    let files = vec![
        FileMetrics::new("small".to_string(), Churn::from(1), 1),
        FileMetrics::new("large".to_string(), Churn::from(30), 40),
        FileMetrics::new("middle".to_string(), Churn::from(3), 4),
        FileMetrics::new("none".to_string(), Churn::from(0), 0),
    ];

    let ranked = rank_metrics(files);
    let names: Vec<&str> = ranked.file_metrics().iter().map(|m| m.filename.as_str()).collect();

    assert_eq!(names, vec!["large", "middle", "small", "none"]);
    for pair in ranked.file_metrics().windows(2) {
        assert!(pair[0].magnitude().at_least(pair[1].magnitude()));
    }
}

#[test]
fn rank_keeps_files_of_equal_magnitude() {
    let files = vec![
        FileMetrics::new("first".to_string(), Churn::from(3), 4),
        FileMetrics::new("second".to_string(), Churn::from(4), 3),
        FileMetrics::new("third".to_string(), Churn::from(5), 0),
    ];

    let ranked = rank_metrics(files);
    let names: Vec<&str> = ranked.file_metrics().iter().map(|m| m.filename.as_str()).collect();

    assert_eq!(names, vec!["third", "second", "first"]);
}

#[test]
fn rank_of_no_files() {
    assert!(rank_metrics(vec![]).file_metrics().is_empty());
}
