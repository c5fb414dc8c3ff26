use quality_time::metrics::{join_metrics, metrics_per_file, Threshold};
use quality_time::{Churn, ChurnMap, CodeAnalysisReader, FileMetrics, MetricReader, ProjectMetrics};

struct TestReader {}

impl MetricReader for TestReader {
    fn get_cyclomatic_from_path_and_content(&self, _path: &str) -> Option<u32> {
        Some(1)
    }
}

fn three_files() -> Vec<FileMetrics> {
    vec![
        FileMetrics {
            churn: Churn::from(15),
            complexity: 20,
            filename: "foo.rs".to_string(),
        },
        FileMetrics {
            churn: Churn::from(10),
            complexity: 30,
            filename: "foo.rs".to_string(),
        },
        FileMetrics {
            churn: Churn::from(20),
            complexity: 10,
            filename: "foo.rs".to_string(),
        },
    ]
}

#[test]
fn project_metric_compute() {
    let metric_data = three_files();

    let metrics = ProjectMetrics::new(metric_data);
    let max_churn = metrics.maximum_churn();
    let sum_churn = metrics.churn_sum();

    let max_complexity = metrics.maximum_complexity();
    let sum_complexity = metrics.complexity_sum();

    assert_eq!(sum_churn, 45);
    assert_eq!(max_churn, 30);

    assert_eq!(max_complexity, 40);
    assert_eq!(sum_complexity, 60);
}

#[test]
fn magnitude() {
    let metric = FileMetrics::new("foo.rs".to_string(), Churn::from(2), 2);

    assert_eq!(metric.magnitude().squared(), 8);
    assert_eq!((metric.magnitude().squared() as f64).sqrt(), 2.8284271247461903)
}

#[test]
fn build_array_of_metric() {
    let mut file_map = ChurnMap::new();
    file_map.insert("file", Churn::from(1));

    let results = metrics_per_file(file_map, TestReader {});

    assert!(results.len() == 1);
    assert!(results[0].churn == Churn::from(1));
    assert!(results[0].complexity == 1);
}

#[test]
fn aggregate_adds_the_margin_to_both_maxima() {
    let aggregate = ProjectMetrics::new(three_files()).aggregate();

    assert_eq!(aggregate.file_count(), 3);
    assert_eq!(aggregate.max_churn(), 30);
    assert_eq!(aggregate.churn_sum(), 45);
    assert_eq!(aggregate.max_complexity(), 40);
    assert_eq!(aggregate.complexity_sum(), 60);
}

#[test]
fn aggregate_of_no_files() {
    let metrics = ProjectMetrics::new(vec![]);
    assert_eq!(metrics.maximum_churn(), 10);
    assert_eq!(metrics.churn_sum(), 0);
    assert_eq!(metrics.maximum_complexity(), 10);
    assert_eq!(metrics.complexity_sum(), 0);

    let aggregate = metrics.aggregate();
    assert_eq!(aggregate.file_count(), 0);
    assert_eq!(aggregate.max_churn(), 10);
    assert_eq!(aggregate.churn_sum(), 0);
    assert_eq!(aggregate.max_complexity(), 10);
    assert_eq!(aggregate.complexity_sum(), 0);
}

#[test]
fn aggregate_of_the_largest_values() {
    let metrics = ProjectMetrics::new(vec![
        FileMetrics::new("a".to_string(), Churn::from(u32::MAX), u32::MAX),
        FileMetrics::new("b".to_string(), Churn::from(u32::MAX), u32::MAX),
    ]);
    let aggregate = metrics.aggregate();
    assert_eq!(aggregate.max_churn(), 4_294_967_305);
    assert_eq!(aggregate.max_complexity(), 4_294_967_305);
    assert_eq!(aggregate.churn_sum(), 8_589_934_590);
    assert_eq!(aggregate.complexity_sum(), 8_589_934_590);
}

#[test]
fn magnitude_grows_with_either_measure() {
    let small = FileMetrics::new("s".to_string(), Churn::from(3), 4);
    let more_churn = FileMetrics::new("c".to_string(), Churn::from(5), 4);
    let more_complexity = FileMetrics::new("x".to_string(), Churn::from(3), 12);

    assert_eq!(small.magnitude().squared(), 25);
    assert_eq!(more_churn.magnitude().squared(), 41);
    assert_eq!(more_complexity.magnitude().squared(), 153);
    assert!(more_churn.magnitude().at_least(small.magnitude()));
    assert!(more_complexity.magnitude().at_least(small.magnitude()));
    assert!(!small.magnitude().at_least(more_churn.magnitude()));
    assert!(small.magnitude().at_least(small.magnitude()));
}

#[test]
fn magnitude_does_not_tell_churn_from_complexity() {
    let one = FileMetrics::new("a".to_string(), Churn::from(7), 24);
    let other = FileMetrics::new("b".to_string(), Churn::from(24), 7);
    assert_eq!(one.magnitude(), other.magnitude());
    assert_eq!(one.magnitude().squared(), 625);
}

#[test]
fn magnitude_of_the_largest_values_fits() {
    let far = FileMetrics::new("far".to_string(), Churn::from(u32::MAX), u32::MAX);
    assert_eq!(far.magnitude().squared(), 2 * 4_294_967_295u128 * 4_294_967_295u128);
}

#[test]
fn churn_is_written_in_base_ten() {
    assert_eq!(Churn::from(0).to_string(), "0");
    assert_eq!(Churn::from(15).to_string(), "15");
    assert_eq!(Churn::from(4_294_967_295).to_string(), "4294967295");
    assert_eq!(Churn::from(15).value(), 15);
    assert_eq!(Churn::default(), Churn::from(0));
    assert!(Churn::from(2) < Churn::from(10));
}

#[test]
fn file_becomes_a_point() {
    let metric = FileMetrics::new("foo.rs".to_string(), Churn::from(15), 20);
    assert_eq!(metric.to_point(), (15, 20));
}

#[test]
fn join_leaves_out_files_without_complexity() {
    let mut file_map = ChurnMap::new();
    file_map.insert("a.rs", Churn::from(1));
    file_map.insert("b.rs", Churn::from(1));

    let files = join_metrics(&file_map, &vec![Some(10), None]);

    assert_eq!(files, vec![FileMetrics::new("a.rs".to_string(), Churn::from(1), 10)]);
}

#[test]
fn join_takes_missing_scores_for_none() {
    let mut file_map = ChurnMap::new();
    file_map.insert("a.rs", Churn::from(4));
    file_map.insert("b.rs", Churn::from(5));
    file_map.insert("c.rs", Churn::from(6));

    let files = join_metrics(&file_map, &vec![None, Some(2)]);
    assert_eq!(files, vec![FileMetrics::new("b.rs".to_string(), Churn::from(5), 2)]);

    let files = join_metrics(&file_map, &vec![Some(1), Some(2), Some(3), Some(4)]);
    assert_eq!(files.len(), 3);
    assert_eq!(files[2], FileMetrics::new("c.rs".to_string(), Churn::from(6), 3));
}

#[test]
fn fixed_score_gives_one_entry_for_each_path() {
    let mut file_map = ChurnMap::new();
    file_map.insert("a.rs", Churn::from(3));
    file_map.insert("b.rs", Churn::from(9));
    file_map.insert("c.rs", Churn::from(6));

    let results = metrics_per_file(file_map, TestReader {});

    assert_eq!(
        results,
        vec![
            FileMetrics::new("a.rs".to_string(), Churn::from(3), 1),
            FileMetrics::new("b.rs".to_string(), Churn::from(9), 1),
            FileMetrics::new("c.rs".to_string(), Churn::from(6), 1),
        ]
    );
}

#[test]
fn code_analysis_reader_answers_what_was_recorded() {
    let mut reader = CodeAnalysisReader::new();
    assert_eq!(reader.get_cyclomatic_from_path_and_content("src/main.rs"), None);

    reader.record("src/main.rs".to_string(), 5);
    reader.record("src/lib.rs".to_string(), 7);
    reader.record("src/main.rs".to_string(), 6);

    assert_eq!(reader.get_cyclomatic_from_path_and_content("src/main.rs"), Some(6));
    assert_eq!(reader.lookup("src/lib.rs"), Some(7));
    assert_eq!(reader.lookup("src/other.rs"), None);
    assert_eq!(CodeAnalysisReader::default().lookup("src/lib.rs"), None);
}

#[test]
fn thresholds_are_half_the_means() {
    let aggregate = ProjectMetrics::new(three_files()).aggregate();
    assert_eq!(aggregate.churn_threshold(), Threshold { numerator: 45, denominator: 6 });
    assert_eq!(aggregate.complexity_threshold(), Threshold { numerator: 60, denominator: 6 });

    let empty = ProjectMetrics::new(vec![]).aggregate();
    assert_eq!(empty.churn_threshold(), Threshold { numerator: 0, denominator: 0 });
    assert_eq!(empty.complexity_threshold(), Threshold { numerator: 0, denominator: 0 });
}
