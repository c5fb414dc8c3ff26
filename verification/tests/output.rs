use quality_time::output::{print_output, Output, OutputError, OutputMode, CELL_LIMIT};
use quality_time::text::decimal_string;
use quality_time::{Churn, FileMetrics, ProjectMetrics};

#[test]
fn display_to_stdout() {
    let metrics = vec![FileMetrics::new("foo.rs".to_string(), Churn::from(1), 1)];
    let output = print_output(OutputMode::StdOut, ProjectMetrics::new(metrics));

    let content = match output {
        Ok(Output::Text(content)) => content,
        _ => panic!("print in writer"),
    };

    assert!(!content.is_empty());

    assert!(content.contains("foo.rs"));
}

#[test]
fn plain_table_is_drawn_with_round_corners() {
    let metrics = vec![
        FileMetrics::new("foo.rs".to_string(), Churn::from(12), 3),
        FileMetrics::new("a/long/path.rs".to_string(), Churn::from(1), 100),
    ];
    let output = print_output(OutputMode::StdOut, ProjectMetrics::new(metrics));

    let content = match output {
        Ok(Output::Text(content)) => content,
        _ => panic!("a table was asked for"),
    };

    let expected = "\
╭────────────────┬───────┬────────────╮
│ Filename       ┆ Churn ┆ Complexity │
╞════════════════╪═══════╪════════════╡
│ foo.rs         ┆ 12    ┆ 3          │
├╌╌╌╌╌╌╌╌╌╌╌╌╌╌╌╌┼╌╌╌╌╌╌╌┼╌╌╌╌╌╌╌╌╌╌╌╌┤
│ a/long/path.rs ┆ 1     ┆ 100        │
╰────────────────┴───────┴────────────╯
";
    assert_eq!(content, expected);
}

#[test]
fn plain_table_of_no_files_has_its_heading() {
    let output = print_output(OutputMode::StdOut, ProjectMetrics::new(vec![]));
    let content = match output {
        Ok(Output::Text(content)) => content,
        _ => panic!("a table was asked for"),
    };
    let expected = "\
╭──────────┬───────┬────────────╮
│ Filename ┆ Churn ┆ Complexity │
╞══════════╪═══════╪════════════╡
╰──────────┴───────┴────────────╯
";
    assert_eq!(content, expected);
}

#[test]
fn dashboard_starts_without_a_selection() {
    let metrics = vec![FileMetrics::new("foo.rs".to_string(), Churn::from(1), 1)];
    match print_output(OutputMode::Tui, ProjectMetrics::new(metrics)) {
        Ok(Output::Dashboard(app)) => {
            assert_eq!(app.selected(), None);
            assert_eq!(app.metrics().file_metrics().len(), 1);
        }
        _ => panic!("the dashboard was asked for"),
    }
}

#[test]
fn numbers_are_written_in_base_ten() {
    assert_eq!(decimal_string(0), "0");
    assert_eq!(decimal_string(9), "9");
    assert_eq!(decimal_string(10), "10");
    assert_eq!(decimal_string(1234567890), "1234567890");
    assert_eq!(decimal_string(u64::MAX), "18446744073709551615");
}

#[test]
fn plain_table_refuses_a_filename_that_is_too_long() {
    let metrics = vec![
        FileMetrics::new("short.rs".to_string(), Churn::from(1), 1),
        FileMetrics::new("a".repeat(CELL_LIMIT), Churn::from(1), 1),
    ];
    let output = print_output(OutputMode::StdOut, ProjectMetrics::new(metrics));
    assert!(matches!(output, Err(OutputError::FilenameTooLong)));
}

#[test]
fn plain_table_draws_the_longest_filename_that_fits() {
    let name = "\u{4e2d}".repeat(CELL_LIMIT - 1);
    let metrics = vec![FileMetrics::new(name.clone(), Churn::from(1), 1)];
    let output = print_output(OutputMode::StdOut, ProjectMetrics::new(metrics));
    match output {
        Ok(Output::Text(content)) => assert!(content.contains(&name)),
        _ => panic!("the filename fits"),
    }
}

#[test]
fn dashboard_takes_a_filename_of_any_length() {
    let metrics = vec![FileMetrics::new("a".repeat(CELL_LIMIT), Churn::from(1), 1)];
    let output = print_output(OutputMode::Tui, ProjectMetrics::new(metrics));
    assert!(matches!(output, Ok(Output::Dashboard(_))));
}
