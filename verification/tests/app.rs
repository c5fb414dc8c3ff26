use quality_time::output::app::chart::{
    complexity_churn_threshold, create_chart, BoundaryPoint, Color, GraphType, Marker,
    RiskBoundary, SeriesData,
};
use quality_time::output::app::table::file_table;
use quality_time::output::app::{
    create_datasets, filter_out_selected_metric, ui, App, Command, KeyPress, CHART_SHARE,
    TABLE_SHARE,
};
use quality_time::{Churn, FileMetrics, ProjectMetrics};

fn three_files() -> Vec<FileMetrics> {
    vec![
        FileMetrics {
            churn: Churn::from(15),
            complexity: 20,
            filename: "foo.rs".to_string(),
        },
        FileMetrics {
            churn: Churn::from(10),
            complexity: 30,
            filename: "foo.rs".to_string(),
        },
        FileMetrics {
            churn: Churn::from(20),
            complexity: 10,
            filename: "foo.rs".to_string(),
        },
    ]
}

fn value(point: &BoundaryPoint) -> f64 {
    point.whole as f64 + point.numerator as f64 / point.denominator as f64
}

#[test]
fn threshold() {
    let one_file = vec![FileMetrics::new("foo.rs".to_string(), Churn::from(20), 20)];
    let aggregate = ProjectMetrics::new(one_file).aggregate();

    let point = complexity_churn_threshold(2, &aggregate);
    let result = value(&point);
    assert!(result > 0.0);
    assert!(result < 100.0);
    assert_eq!(point, BoundaryPoint { churn: 2, whole: 0, numerator: 200, denominator: 4 });
    assert_eq!(result, 50.0);
}

#[test]
fn test_filter_out_selected_metric() {
    let metric_data = vec![(15, 20), (10, 30), (20, 10)];
    let selected_metric = vec![(20, 10)];

    let result = filter_out_selected_metric(&metric_data, &selected_metric);
    assert_eq!(result, vec![(15, 20), (10, 30)]);
}

#[test]
fn filter_out_leaves_every_equal_point_out() {
    let metric_data = vec![(1, 1), (2, 2), (1, 1), (3, 3)];
    assert_eq!(filter_out_selected_metric(&metric_data, &[(1, 1)]), vec![(2, 2), (3, 3)]);
    assert_eq!(filter_out_selected_metric(&metric_data, &[]), metric_data);
    assert_eq!(filter_out_selected_metric(&metric_data, &[(9, 9)]), metric_data);
    assert_eq!(filter_out_selected_metric(&[], &[(1, 1)]), vec![]);
}

#[test]
fn test_create_datasets() {
    let threshold_points = RiskBoundary::new(ProjectMetrics::new(three_files()).aggregate());
    let metric_data = vec![(15, 20), (10, 30)];

    let selected_point = vec![(20, 10)];
    let result = create_datasets(threshold_points, metric_data, selected_point);
    assert_eq!(result.len(), 3);

    assert_eq!(result[0].marker, Marker::Dot);
    assert_eq!(result[0].graph_type, GraphType::Line);
    assert_eq!(result[0].color, Color::DarkGray);
    assert!(!result[0].bold);
    assert!(matches!(&result[0].data, SeriesData::Boundary(boundary) if boundary.len() == 39));

    assert_eq!(result[1].marker, Marker::Dot);
    assert_eq!(result[1].graph_type, GraphType::Scatter);
    assert_eq!(result[1].color, Color::Green);
    assert!(result[1].bold);
    assert!(matches!(&result[1].data, SeriesData::Files(points) if points == &vec![(15, 20), (10, 30)]));

    assert_eq!(result[2].marker, Marker::Block);
    assert_eq!(result[2].graph_type, GraphType::Scatter);
    assert_eq!(result[2].color, Color::Magenta);
    assert!(!result[2].bold);
    assert!(matches!(&result[2].data, SeriesData::Files(points) if points == &vec![(20, 10)]));
}

#[test]
fn app_selection_next() {
    let metric_data = three_files();

    let metrics = ProjectMetrics::new(metric_data);

    let mut app = App::new(metrics);

    assert!(app.selected().is_none());

    app.next();

    assert!(app.selected().is_some());

    app.next();
    app.next();
    app.next();

    assert!(app.selected().is_some());
}

#[test]
fn app_selection_previous() {
    let metric_data = three_files();

    let metrics = ProjectMetrics::new(metric_data);

    let mut app = App::new(metrics);

    assert!(app.selected().is_none());

    app.previous();

    assert!(app.selected().is_some());

    app.previous();
    app.previous();
    app.previous();

    assert!(app.selected().is_some());
}

#[test]
fn cursor_wraps_around() {
    let mut app = App::new(ProjectMetrics::new(three_files()));
    assert_eq!(app.selected(), None);

    let mut seen = vec![];
    for _ in 0..4 {
        app.next();
        seen.push(app.selected());
    }
    assert_eq!(seen, vec![Some(0), Some(1), Some(2), Some(0)]);

    app.previous();
    assert_eq!(app.selected(), Some(2));
    app.previous();
    assert_eq!(app.selected(), Some(1));
}

#[test]
fn first_step_back_selects_the_first_file() {
    let mut app = App::new(ProjectMetrics::new(three_files()));
    app.previous();
    assert_eq!(app.selected(), Some(0));
}

#[test]
fn cursor_over_no_files_stays_unset() {
    let mut app = App::new(ProjectMetrics::new(vec![]));
    app.next();
    assert_eq!(app.selected(), None);
    app.previous();
    assert_eq!(app.selected(), None);
    assert_eq!(app.on_key(KeyPress::Down), Command::Redraw);
    assert_eq!(app.selected(), None);
}

#[test]
fn cursor_over_one_file_stays_on_it() {
    let one = vec![FileMetrics::new("only.rs".to_string(), Churn::from(1), 1)];
    let mut app = App::new(ProjectMetrics::new(one));
    app.next();
    assert_eq!(app.selected(), Some(0));
    app.next();
    assert_eq!(app.selected(), Some(0));
    app.previous();
    assert_eq!(app.selected(), Some(0));
}

#[test]
fn keys_move_the_cursor_or_end_the_session() {
    let mut app = App::new(ProjectMetrics::new(three_files()));

    assert_eq!(app.on_key(KeyPress::Down), Command::Redraw);
    assert_eq!(app.selected(), Some(0));
    assert_eq!(app.on_key(KeyPress::Up), Command::Redraw);
    assert_eq!(app.selected(), Some(2));
    assert_eq!(app.on_key(KeyPress::Other), Command::Redraw);
    assert_eq!(app.selected(), Some(2));
    assert_eq!(app.on_key(KeyPress::Char('x')), Command::Redraw);
    assert_eq!(app.selected(), Some(2));
    assert_eq!(app.on_key(KeyPress::Char('q')), Command::Quit);
    assert_eq!(app.selected(), Some(2));
    assert_eq!(app.metrics().file_metrics().len(), 3);
}

#[test]
fn create_file_table() {
    let items = vec![
        FileMetrics {
            filename: "file1.txt".to_string(),
            churn: Churn::from(15),
            complexity: 20,
        },
        FileMetrics {
            filename: "file2.txt".to_string(),
            churn: Churn::from(10),
            complexity: 30,
        },
    ];

    let table = file_table(&items);

    assert_eq!(table.title, "Files");
    assert_eq!(table.header, vec!["Filename", "Churn", "Complexity", "Magnitude"]);
    assert_eq!(table.header_color, Color::Red);
    assert_eq!(table.highlight_symbol, ">> ");
    assert_eq!(table.rows.len(), 2);
    assert_eq!(table.rows[0].filename, "file1.txt");
    assert_eq!(table.rows[0].churn, "15");
    assert_eq!(table.rows[0].complexity, "20");
    assert_eq!(table.rows[0].magnitude.squared(), 625);
    assert_eq!(table.rows[1].filename, "file2.txt");
    assert_eq!(table.rows[1].churn, "10");
    assert_eq!(table.rows[1].complexity, "30");
    assert_eq!(table.rows[1].magnitude.squared(), 1000);
}

#[test]
fn file_becomes_a_row() {
    let row = FileMetrics::new("src/lib.rs".to_string(), Churn::from(0), 7).to_cells();
    assert_eq!(row.filename, "src/lib.rs");
    assert_eq!(row.churn, "0");
    assert_eq!(row.complexity, "7");
    assert_eq!(row.magnitude.squared(), 49);
}

#[test]
fn chart_has_ticks_at_zero_midpoint_and_maximum() {
    let chart = create_chart(vec![], 30, 45);

    assert_eq!(chart.title, "Churn vs Complexity");
    assert_eq!(chart.title_color, Color::Cyan);
    assert!(chart.datasets.is_empty());
    assert_eq!(chart.x_axis.title, "Churn");
    assert_eq!(chart.x_axis.color, Color::Gray);
    assert_eq!(chart.x_axis.bound, 30);
    assert_eq!(chart.x_axis.labels, vec!["0", "15", "30"]);
    assert_eq!(chart.y_axis.title, "Complexity");
    assert_eq!(chart.y_axis.color, Color::Gray);
    assert_eq!(chart.y_axis.bound, 45);
    assert_eq!(chart.y_axis.labels, vec!["0", "22", "45"]);
}

#[test]
fn boundary_has_nine_points_more_than_the_largest_churn() {
    let boundary = RiskBoundary::new(ProjectMetrics::new(three_files()).aggregate());
    assert_eq!(boundary.len(), 39);
    for i in 0..boundary.len() {
        let point = boundary.point(i);
        assert_eq!(point.churn, i + 1);
        assert!(point.churn != 0);
    }
    assert_eq!(boundary.point(38).churn, 39);

    let empty = RiskBoundary::new(ProjectMetrics::new(vec![]).aggregate());
    assert_eq!(empty.len(), 19);
}

#[test]
fn boundary_follows_the_formula() {
    // Three files, churn sum 45, complexity sum 60: both thresholds are the
    // sums over 6, and the boundary at churn x is 100 / x - 7.5 + 10.
    let boundary = RiskBoundary::new(ProjectMetrics::new(three_files()).aggregate());

    let first = boundary.point(0);
    assert_eq!(first, BoundaryPoint { churn: 1, whole: 2, numerator: 603, denominator: 6 });
    assert_eq!(value(&first), 102.5);

    let fourth = boundary.point(3);
    assert_eq!(fourth, BoundaryPoint { churn: 4, whole: 2, numerator: 612, denominator: 24 });
    assert_eq!(value(&fourth), 27.5);

    let last = boundary.point(38);
    assert_eq!(last, BoundaryPoint { churn: 39, whole: 2, numerator: 717, denominator: 234 });
    assert!((value(&last) - (100.0 / 39.0 - 7.5 + 10.0)).abs() < 1e-12);
}

#[test]
fn boundary_lies_lower_where_churn_outweighs_complexity() {
    // One file, churn 7 and complexity 2: thresholds 3.5 and 1, and the
    // boundary at churn x is 100 / x - 3.5 + 1.
    let one_file = vec![FileMetrics::new("foo.rs".to_string(), Churn::from(7), 2)];
    let aggregate = ProjectMetrics::new(one_file).aggregate();

    let point = complexity_churn_threshold(8, &aggregate);
    assert_eq!(point, BoundaryPoint { churn: 8, whole: -3, numerator: 208, denominator: 16 });
    assert_eq!(value(&point), 10.0);

    let even = vec![FileMetrics::new("foo.rs".to_string(), Churn::from(8), 2)];
    let point = complexity_churn_threshold(50, &ProjectMetrics::new(even).aggregate());
    assert_eq!(point, BoundaryPoint { churn: 50, whole: -3, numerator: 200, denominator: 100 });
    assert_eq!(value(&point), -1.0);
}

#[test]
fn boundary_has_no_value_without_files_or_at_churn_zero() {
    let empty = ProjectMetrics::new(vec![]).aggregate();
    assert_eq!(
        complexity_churn_threshold(3, &empty),
        BoundaryPoint { churn: 3, whole: 0, numerator: 0, denominator: 0 }
    );
    let aggregate = ProjectMetrics::new(three_files()).aggregate();
    assert_eq!(
        complexity_churn_threshold(0, &aggregate),
        BoundaryPoint { churn: 0, whole: 0, numerator: 0, denominator: 0 }
    );
}

#[test]
fn frame_shows_all_files_when_none_is_selected() {
    let app = App::new(ProjectMetrics::new(three_files()));

    let frame = ui(&app);

    assert_eq!(frame.selected, None);
    assert_eq!(frame.table.rows.len(), 3);
    assert_eq!(frame.table.rows[2].churn, "20");
    assert_eq!(frame.chart.datasets.len(), 3);
    assert!(matches!(&frame.chart.datasets[0].data, SeriesData::Boundary(b) if b.len() == 39));
    assert!(matches!(
        &frame.chart.datasets[1].data,
        SeriesData::Files(points) if points == &vec![(15, 20), (10, 30), (20, 10)]
    ));
    assert!(matches!(&frame.chart.datasets[2].data, SeriesData::Files(points) if points.is_empty()));
    assert_eq!(frame.chart.x_axis.bound, 30);
    assert_eq!(frame.chart.x_axis.labels, vec!["0", "15", "30"]);
    assert_eq!(frame.chart.y_axis.bound, 40);
    assert_eq!(frame.chart.y_axis.labels, vec!["0", "20", "40"]);
    assert_eq!(TABLE_SHARE + CHART_SHARE, 100);
}

#[test]
fn frame_draws_the_selected_file_by_itself() {
    let mut app = App::new(ProjectMetrics::new(three_files()));
    app.next();
    app.next();

    let frame = ui(&app);

    assert_eq!(frame.selected, Some(1));
    assert!(matches!(
        &frame.chart.datasets[1].data,
        SeriesData::Files(points) if points == &vec![(15, 20), (20, 10)]
    ));
    assert!(matches!(
        &frame.chart.datasets[2].data,
        SeriesData::Files(points) if points == &vec![(10, 30)]
    ));
}

#[test]
fn frame_of_no_files() {
    let frame = ui(&App::new(ProjectMetrics::new(vec![])));

    assert_eq!(frame.selected, None);
    assert!(frame.table.rows.is_empty());
    assert_eq!(frame.chart.x_axis.labels, vec!["0", "5", "10"]);
    assert_eq!(frame.chart.y_axis.labels, vec!["0", "5", "10"]);
    assert!(matches!(&frame.chart.datasets[0].data, SeriesData::Boundary(b) if b.len() == 19));
}
